use merkle::hash_data;
use merkle::hash_pair;
use merkle::verify_proof;
use merkle::MerkleTree;

#[test]
fn nodes_created() {
    let data = b"asdfasdfasdfasdfasdfasdfasdfasdf";
    let tree = MerkleTree::new(data, 8);
    assert_eq!(tree.leaves(), 8);
    assert_eq!(tree.size(), 15);
}

#[test]
fn hashes() {
    let data = b"asdfjkln12345678";
    let tree = MerkleTree::new(data, 4);

    for idx in 0..tree.leaves() {
        let item = &data.chunks(data.len() / 4).nth(idx).unwrap();
        assert_eq!(hash_data(item), tree.node(idx));
    }
    for idx in tree.leaves()..tree.size() {
        assert_eq!(
            hash_pair(&tree.node(tree.left_idx(idx)), &tree.node(tree.right_idx(idx))),
            tree.node(idx)
        );
    }
}

#[test]
fn invalid_item() {
    let data = b"asdfjkln12345678";
    let tree = MerkleTree::new(data, 4);
    let item = &data.chunks(data.len() / 4).nth(3).unwrap();

    assert!(tree.inclusion_proof(item, 2).is_none());
    assert!(tree.inclusion_proof(item, 10).is_none());
    assert!(tree.inclusion_proof(&[0; 32], 0).is_none());
}

#[test]
fn valid_proof() {
    let data = b"asdfjkln12345678";
    let tree = MerkleTree::new(data, 4);

    let item = &data.chunks(data.len() / 4).nth(2).unwrap();
    let proof = tree.inclusion_proof(item, 2).unwrap();
    assert!(verify_proof(item, tree.root(), &proof));
}

#[test]
fn invalid_proof() {
    let data = b"asdfjkln12345678";
    let tree = MerkleTree::new(data, 4);

    let item = &data.chunks(data.len() / 4).nth(2).unwrap();
    let mut proof = tree.inclusion_proof(item, 2).unwrap();
    proof[0].1 = !proof[0].1;
    assert_eq!(verify_proof(item, tree.root(), &proof), false);
}

#[test]
fn four_leaf_scenario() {
    let data = b"asdfjkln12345678";
    let tree = MerkleTree::new(data, 4);

    assert_eq!(data.len() / tree.leaves(), 4);
    assert_eq!(tree.leaves(), 4);
    assert_eq!(tree.size(), 7);

    let item2 = &data[8..12];
    let proof2 = tree.inclusion_proof(item2, 2).unwrap();
    assert_eq!(proof2.len(), 2);
    assert!(verify_proof(item2, tree.root(), &proof2));

    let item3 = &data[12..16];
    assert!(!verify_proof(item3, tree.root(), &proof2));
}

#[test]
fn tampered_sibling_byte() {
    let data = b"asdfjkln12345678";
    let tree = MerkleTree::new(data, 4);

    let item = &data[4..8];
    let proof = tree.inclusion_proof(item, 1).unwrap();
    assert!(verify_proof(item, tree.root(), &proof));

    for level in 0..proof.len() {
        for byte in 0..32 {
            let mut tampered = proof.clone();
            tampered[level].0[byte] ^= 1;
            assert!(!verify_proof(item, tree.root(), &tampered));
        }
        let mut tampered = proof.clone();
        tampered[level].1 = !tampered[level].1;
        assert!(!verify_proof(item, tree.root(), &tampered));
    }
}

#[test]
fn single_leaf_tree() {
    let data = b"ab";
    let tree = MerkleTree::new(data, 1);
    assert_eq!(tree.leaves(), 1);
    assert_eq!(tree.size(), 1);
    assert_eq!(tree.root(), hash_data(data));

    let proof = tree.inclusion_proof(data, 0).unwrap();
    assert_eq!(proof.len(), 0);
    assert!(verify_proof(data, tree.root(), &proof));
}

#[test]
fn index_arithmetic() {
    let data = b"asdfjkln12345678";
    let tree = MerkleTree::new(data, 4);

    assert_eq!(tree.parent_idx(0), 4);
    assert_eq!(tree.parent_idx(1), 4);
    assert_eq!(tree.parent_idx(2), 5);
    assert_eq!(tree.parent_idx(3), 5);
    assert_eq!(tree.parent_idx(4), 6);
    assert_eq!(tree.parent_idx(5), 6);

    assert_eq!(tree.sibling_idx(0), 1);
    assert_eq!(tree.sibling_idx(1), 0);
    assert_eq!(tree.sibling_idx(4), 5);
    assert_eq!(tree.sibling_idx(5), 4);

    assert_eq!(tree.left_idx(4), 1);
    assert_eq!(tree.right_idx(4), 0);
    assert_eq!(tree.left_idx(5), 3);
    assert_eq!(tree.right_idx(5), 2);
    assert_eq!(tree.left_idx(6), 5);
    assert_eq!(tree.right_idx(6), 4);
}

#[test]
fn known_digests() {
    let abc = [
        0xba, 0x78, 0x16, 0xbf, 0x8f, 0x01, 0xcf, 0xea, 0x41, 0x41, 0x40, 0xde, 0x5d, 0xae,
        0x22, 0x23, 0xb0, 0x03, 0x61, 0xa3, 0x96, 0x17, 0x7a, 0x9c, 0xb4, 0x10, 0xff, 0x61,
        0xf2, 0x00, 0x15, 0xad,
    ];
    assert_eq!(hash_data(b"abc"), abc);

    let empty = [
        0xe3, 0xb0, 0xc4, 0x42, 0x98, 0xfc, 0x1c, 0x14, 0x9a, 0xfb, 0xf4, 0xc8, 0x99, 0x6f,
        0xb9, 0x24, 0x27, 0xae, 0x41, 0xe4, 0x64, 0x9b, 0x93, 0x4c, 0xa4, 0x95, 0x99, 0x1b,
        0x78, 0x52, 0xb8, 0x55,
    ];
    assert_eq!(hash_data(b""), empty);
}

#[test]
fn pair_hash_is_concatenation_digest() {
    let a = hash_data(b"left");
    let b = hash_data(b"right");

    let mut joined = [0u8; 64];
    joined[..32].copy_from_slice(&a);
    joined[32..].copy_from_slice(&b);
    assert_eq!(hash_pair(&a, &b), hash_data(&joined));

    // The operand order matters: swapping the children gives another digest.
    assert_ne!(hash_pair(&a, &b), hash_pair(&b, &a));
    assert_ne!(hash_pair(&a, &b), a);
    assert_ne!(hash_pair(&a, &b), b);
}

#[test]
fn node_constructors() {
    let data = b"chunk";
    let leaf = merkle::Node::as_leaf(data);
    assert_eq!(leaf.value, hash_data(data));

    let other = merkle::Node::new(hash_data(b"other"));
    let parent = merkle::Node::as_parent(&leaf, &other);
    assert_eq!(parent.value, hash_pair(&leaf.value, &other.value));
}
