use std::collections::hash_map::DefaultHasher;
use std::hash::{Hash, Hasher};
use zkvm_from_scratch::crypto::{
    hash_bytes, hash_pair, hash_u32, HashFunction, MerkleTree, SimpleHash,
};

fn std_digest(data: &[u8]) -> [u8; 32] {
    let mut hasher = DefaultHasher::new();
    data.hash(&mut hasher);
    let mut digest = [0u8; 32];
    digest[0..8].copy_from_slice(&hasher.finish().to_le_bytes());
    digest
}

#[test]
fn test_merkle_tree() {
    let data: Vec<&[u8]> = vec![b"leaf1", b"leaf2"];
    let tree = MerkleTree::new(data);
    assert_ne!(tree.root(), &[0u8; 32]);
}

#[test]
fn digest_is_the_default_hash_padded_with_zeros() {
    assert_eq!(hash_bytes(b"leaf1"), std_digest(b"leaf1"));
    assert_eq!(hash_bytes(b""), std_digest(b""));
    assert_eq!(SimpleHash.hash(b"abc"), std_digest(b"abc"));
    assert_eq!(hash_u32(0x0102_0304), std_digest(&[4, 3, 2, 1]));
    assert_eq!(&hash_bytes(b"leaf1")[8..], &[0u8; 24]);
    assert_ne!(hash_bytes(b"leaf1"), hash_bytes(b"leaf2"));
}

#[test]
fn pair_digest_depends_on_the_order() {
    let left = hash_bytes(b"left");
    let right = hash_bytes(b"right");
    let mut joined = left.to_vec();
    joined.extend_from_slice(&right);
    assert_eq!(hash_pair(&left, &right), std_digest(&joined));
    assert_ne!(hash_pair(&left, &right), hash_pair(&right, &left));
}

#[test]
fn merkle_proof_of_first_leaf_verifies() {
    let data: Vec<&[u8]> = vec![b"leaf1", b"leaf2"];
    let tree = MerkleTree::new(data);
    let proof = tree.generate_proof(0).unwrap();
    assert_eq!(proof.index, 0);
    assert_eq!(proof.leaf, hash_bytes(b"leaf1"));
    assert_eq!(proof.proof, vec![hash_bytes(b"leaf2")]);
    assert!(tree.verify_proof(&proof));
    assert_eq!(*tree.root(), hash_pair(&hash_bytes(b"leaf1"), &hash_bytes(b"leaf2")));
}

#[test]
fn every_leaf_of_every_small_tree_verifies() {
    for count in 1..=9usize {
        let items: Vec<Vec<u8>> = (0..count).map(|i| vec![i as u8, 7]).collect();
        let data: Vec<&[u8]> = items.iter().map(|item| item.as_slice()).collect();
        let tree = MerkleTree::new(data);
        let leaves = count + count % 2;
        for index in 0..leaves {
            let proof = tree.generate_proof(index).unwrap();
            assert!(tree.verify_proof(&proof), "{count} leaves, index {index}");
        }
        assert!(tree.generate_proof(leaves).is_none());
    }
}

#[test]
fn an_unpaired_node_is_hashed_with_itself() {
    let items: [&[u8]; 6] = [b"a", b"b", b"c", b"d", b"e", b"f"];
    let tree = MerkleTree::new(items.to_vec());
    let h: Vec<[u8; 32]> = items.iter().map(|item| hash_bytes(item)).collect();
    let n0 = hash_pair(&h[0], &h[1]);
    let n1 = hash_pair(&h[2], &h[3]);
    let n2 = hash_pair(&h[4], &h[5]);
    let m0 = hash_pair(&n0, &n1);
    let m1 = hash_pair(&n2, &n2);
    assert_eq!(*tree.root(), hash_pair(&m0, &m1));
    let proof = tree.generate_proof(4).unwrap();
    assert_eq!(proof.proof, vec![h[5], n2, m0]);
    assert!(tree.verify_proof(&proof));
}

#[test]
fn a_single_leaf_is_doubled() {
    let tree = MerkleTree::new(vec![b"only".as_slice()]);
    let leaf = hash_bytes(b"only");
    assert_eq!(*tree.root(), hash_pair(&leaf, &leaf));
    assert!(tree.verify_proof(&tree.generate_proof(1).unwrap()));
}

#[test]
fn the_empty_tree_has_the_zero_root_and_no_proofs() {
    let tree = MerkleTree::new(Vec::new());
    assert_eq!(tree.root(), &[0u8; 32]);
    assert!(tree.generate_proof(0).is_none());
}

#[test]
fn a_tampered_proof_is_rejected() {
    let data: Vec<&[u8]> = vec![b"leaf1", b"leaf2", b"leaf3", b"leaf4"];
    let tree = MerkleTree::new(data);
    let mut proof = tree.generate_proof(2).unwrap();
    proof.index = 3;
    assert!(!tree.verify_proof(&proof));
    let mut other = tree.generate_proof(2).unwrap();
    other.leaf = hash_bytes(b"leaf5");
    assert!(!tree.verify_proof(&other));
}
