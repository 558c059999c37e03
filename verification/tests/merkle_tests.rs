use bitcoin_client::hash::{hash_element, hash_node, prefixed_element};
use bitcoin_client::mapping::leaves_of;
use bitcoin_client::merkle::{compute_root, verify_proof, MerkleTree};

fn hex(text: &str) -> Vec<u8> {
    let digits: Vec<u8> = text
        .bytes()
        .map(|c| match c {
            b'0'..=b'9' => c - b'0',
            b'a'..=b'f' => c - b'a' + 10,
            _ => panic!("no hex digit"),
        })
        .collect();
    digits.chunks(2).map(|pair| pair[0] * 16 + pair[1]).collect()
}

fn hash(text: &str) -> [u8; 32] {
    let mut out = [0u8; 32];
    out.copy_from_slice(&hex(text));
    out
}

fn sample_elements() -> Vec<Vec<u8>> {
    vec![
        hex(""),
        hex("00"),
        hex("10"),
        hex("2021"),
        hex("3031"),
        hex("40414243"),
        hex("5051525354555657"),
        hex("606162636465666768696a6b6c6d6e6f"),
    ]
}

fn sample_tree(size: usize) -> MerkleTree {
    MerkleTree::new(leaves_of(&sample_elements()[..size]))
}

#[test]
fn element_hash_is_sha256_behind_a_zero_byte() {
    assert_eq!(
        hash_element(b""),
        hash("6e340b9cffb37a989ca544e6bb780a2c78901d3fb33738768511a30617afa01d")
    );
    assert_eq!(
        hash_element(b"abc"),
        hash("609f6e36d2405585188d5cfd761f407c7cc46a7d3f314c88270469dde315fcd1")
    );
    assert_eq!(prefixed_element(b"abc"), vec![0u8, b'a', b'b', b'c']);
}

#[test]
fn node_hash_is_sha256_behind_a_one_byte() {
    assert_eq!(
        hash_node(&[0u8; 32], &[0xffu8; 32]),
        hash("bc6b943b820c449acf880d293c216a24a8066b153f87f2361fae2beda3a72641")
    );
}

#[test]
fn empty_tree_commits_to_zeros() {
    let tree = MerkleTree::new(Vec::new());
    assert_eq!(*tree.root_hash(), [0u8; 32]);
    assert_eq!(tree.size(), 0);
    assert_eq!(tree.get_leaf(0), None);
    assert_eq!(tree.get_leaf_proof(0), None);
}

#[test]
fn single_leaf_is_its_own_root() {
    let tree = sample_tree(1);
    assert_eq!(*tree.root_hash(), hash_element(b""));
    assert_eq!(tree.get_leaf_proof(0), Some(Vec::new()));
}

#[test]
fn roots_of_growing_lists() {
    let expected = [
        "6e340b9cffb37a989ca544e6bb780a2c78901d3fb33738768511a30617afa01d",
        "fac54203e7cc696cf0dfcb42c92a1d9dbaf70ad9e621f4bd8d98662f00e3c125",
        "aeb6bcfe274b70a14fb067a5e5578264db0fa9b51af5e0ba159158f329e06e77",
        "d37ee418976dd95753c1c73862b9398fa2a2cf9b4ff0fdfe8b30cd95209614b7",
        "4e3bbb1f7b478dcfe71fb631631519a3bca12c9aefca1612bfce4c13a86264d4",
        "76e67dadbcdf1e10e1b74ddc608abd2f98dfb16fbce75277b5232a127f2087ef",
        "ddb89be403809e325750d3d263cd78929c2942b7942a34b77e122c9594a74c8c",
        "5dc9da79a70659a9ad559cb701ded9a2ab9d823aad2f4960cfe370eff4604328",
    ];
    for size in 1..=8 {
        assert_eq!(*sample_tree(size).root_hash(), hash(expected[size - 1]), "size {}", size);
    }
}

#[test]
fn proofs_list_siblings_from_the_leaf_up() {
    assert_eq!(
        sample_tree(8).get_leaf_proof(3),
        Some(vec![
            hash("0298d122906dcfc10892cb53a73992fc5b9f493ea4c9badb27b791b4127a7fe7"),
            hash("fac54203e7cc696cf0dfcb42c92a1d9dbaf70ad9e621f4bd8d98662f00e3c125"),
            hash("6b47aaf29ee3c2af9af889bc1fb9254dabd31177f16232dd6aab035ca39bf6e4"),
        ])
    );
    assert_eq!(
        sample_tree(5).get_leaf_proof(4),
        Some(vec![hash("d37ee418976dd95753c1c73862b9398fa2a2cf9b4ff0fdfe8b30cd95209614b7")])
    );
    assert_eq!(
        sample_tree(7).get_leaf_proof(6),
        Some(vec![
            hash("0ebc5d3437fbe2db158b9f126a1d118e308181031d0a949f8dededebc558ef6a"),
            hash("d37ee418976dd95753c1c73862b9398fa2a2cf9b4ff0fdfe8b30cd95209614b7"),
        ])
    );
}

#[test]
fn every_proof_verifies_against_the_root() {
    for size in 1..=8usize {
        let tree = sample_tree(size);
        for index in 0..size {
            let leaf = *tree.get_leaf(index).unwrap();
            let proof = tree.get_leaf_proof(index).unwrap();
            assert!(verify_proof(tree.root_hash(), size, index, &leaf, &proof));
            assert_eq!(compute_root(size, index, &leaf, &proof), Some(*tree.root_hash()));
        }
        assert_eq!(tree.get_leaf_proof(size), None);
    }
}

#[test]
fn corrupted_leaf_or_sibling_fails_verification() {
    for size in 2..=8usize {
        let tree = sample_tree(size);
        for index in 0..size {
            let leaf = *tree.get_leaf(index).unwrap();
            let proof = tree.get_leaf_proof(index).unwrap();
            let mut bad_leaf = leaf;
            bad_leaf[31] ^= 1;
            assert!(!verify_proof(tree.root_hash(), size, index, &bad_leaf, &proof));
            for k in 0..proof.len() {
                let mut bad_proof = proof.clone();
                bad_proof[k][0] ^= 0x80;
                assert!(!verify_proof(tree.root_hash(), size, index, &leaf, &bad_proof));
            }
            let mut long_proof = proof.clone();
            long_proof.push([0u8; 32]);
            assert!(!verify_proof(tree.root_hash(), size, index, &leaf, &long_proof));
            let short_proof = &proof[..proof.len() - 1];
            assert!(!verify_proof(tree.root_hash(), size, index, &leaf, short_proof));
        }
    }
}

#[test]
fn proof_for_a_position_outside_the_list_is_refused() {
    let tree = sample_tree(4);
    let leaf = *tree.get_leaf(0).unwrap();
    let proof = tree.get_leaf_proof(0).unwrap();
    assert_eq!(compute_root(4, 4, &leaf, &proof), None);
    assert_eq!(compute_root(0, 0, &leaf, &[]), None);
    assert!(!verify_proof(tree.root_hash(), 4, 1, &leaf, &proof));
}

#[test]
fn leaf_index_is_the_first_position() {
    let leaves = vec![[1u8; 32], [2u8; 32], [1u8; 32]];
    let tree = MerkleTree::new(leaves);
    assert_eq!(tree.get_leaf_index(&[1u8; 32]), Some(0));
    assert_eq!(tree.get_leaf_index(&[2u8; 32]), Some(1));
    assert_eq!(tree.get_leaf_index(&[3u8; 32]), None);
    assert_eq!(tree.get_leaf_index(&[1u8; 31]), None);
    assert_eq!(tree.get_leaf(2), Some(&[1u8; 32]));
}

#[test]
fn commitment_depends_on_order() {
    let forward = MerkleTree::new(vec![[1u8; 32], [2u8; 32]]);
    let backward = MerkleTree::new(vec![[2u8; 32], [1u8; 32]]);
    assert_ne!(*forward.root_hash(), *backward.root_hash());
    let again = MerkleTree::new(vec![[1u8; 32], [2u8; 32]]);
    assert_eq!(*forward.root_hash(), *again.root_hash());
}
