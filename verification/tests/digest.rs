use stacks_atlas_signer::bits::{get_leaf_hash, get_node_hash, TrieHash};
use stacks_atlas_signer::digest::hash160_of;
use stacks_atlas_signer::types::Attachment;

fn hex(bytes: &[u8]) -> String {
    let mut out = String::new();
    for b in bytes {
        out.push_str(&format!("{:02x}", b));
    }
    out
}

#[test]
fn hash160_of_nothing() {
    assert_eq!(hex(&hash160_of(&[]).0), "b472a266d0bd89c13706a4132ccfb16f7c3b9fcb");
}

#[test]
fn hash160_of_abc() {
    // RIPEMD-160 over the SHA-256 digest of "abc"
    assert_eq!(hex(&hash160_of(b"abc").0), "bb1be98c142444d7a56aa3981c3942a978e4dc33");
}

#[test]
fn attachment_hash_is_the_hash_of_its_content() {
    let attachment = Attachment::new(b"abc".to_vec());
    assert_eq!(attachment.hash().0, hash160_of(b"abc").0);
    assert_eq!(hex(&Attachment::empty().hash().0), "b472a266d0bd89c13706a4132ccfb16f7c3b9fcb");
}

#[test]
fn leaf_hash_of_nothing() {
    assert_eq!(
        hex(&get_leaf_hash(&[]).0),
        "c672b8d1ef56ed28ab87c3622c5114069bdd3ad7b8f9737498d0c01ecef0967a"
    );
}

#[test]
fn leaf_hash_of_abc() {
    assert_eq!(
        hex(&get_leaf_hash(b"abc").0),
        "53048e2681941ef99b2e29b76b4c7dabe4c2d0c634fc6d46e0e2f13107e7af23"
    );
}

#[test]
fn node_hash_covers_the_children_in_order() {
    let a = TrieHash([1u8; 32]);
    let b = TrieHash([2u8; 32]);
    let mut joined = b"node".to_vec();
    joined.extend_from_slice(&[1u8; 32]);
    joined.extend_from_slice(&[2u8; 32]);
    assert_eq!(get_node_hash(b"node", &vec![a, b]).0, get_leaf_hash(&joined).0);
    assert_ne!(get_node_hash(b"node", &vec![b, a]).0, get_node_hash(b"node", &vec![a, b]).0);
    assert_eq!(get_node_hash(b"node", &vec![]).0, get_leaf_hash(b"node").0);
}
