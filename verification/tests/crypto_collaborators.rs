use base58::ToBase58;
use merkle::MerkleTree;
use ring::digest::SHA256;
use secp256k1::ecdsa::Signature;
use secp256k1::{Message, PublicKey};
use sha2::{Digest, Sha256};

use saito::block::Block;
use saito::helper::create_merkle_root;
use saito::slip::Slip;
use saito::transaction::{Transaction, TransactionType};
use saito::wallet::Wallet;

fn hashed_tx(owner: Vec<u8>, amount: i64) -> Transaction {
    let mut tx = Transaction::new(TransactionType::Base);
    let mut from = Slip::new(owner.clone());
    from.amount = amount;
    tx.add_from_slip(from);
    let mut to = Slip::new(owner);
    to.amount = amount;
    tx.add_to_slip(to);
    tx
}

#[test]
fn block_hash_is_sha256_of_the_preimage() {
    let block = Block::new(vec![4u8; 32], vec![9u8; 33]);
    let hash = block.return_block_hash();
    assert_eq!(hash.len(), 32);

    let mut preimage: Vec<u8> = Vec::new();
    preimage.extend_from_slice(&block.id.to_be_bytes());
    preimage.extend_from_slice(&block.previous_hash);
    preimage.extend_from_slice(&block.timestamp.to_be_bytes());
    preimage.extend_from_slice(&block.creator);
    let expected = Sha256::digest(&preimage);
    assert_eq!(hash.as_slice(), expected.as_slice());
}

#[test]
fn block_hash_depends_on_the_fields() {
    let block = Block::new(Vec::new(), vec![9u8; 33]);
    let mut other = block.clone();
    other.id = block.id + 1;
    assert_ne!(block.return_block_hash(), other.return_block_hash());
}

#[test]
fn merkle_root_matches_the_merkle_crate() {
    let txs = vec![hashed_tx(vec![1u8; 33], 5), hashed_tx(vec![2u8; 33], 6)];
    let root = create_merkle_root(txs.clone());
    assert_eq!(root.len(), 32);

    let leaves: Vec<Vec<u8>> = txs.iter().map(|t| t.return_signature_source()).collect();
    let tree = MerkleTree::from_vec(&SHA256, leaves);
    assert_eq!(&root, tree.root_hash());

    let empty_root = create_merkle_root(Vec::new());
    assert_eq!(empty_root.len(), 32);
    assert_ne!(empty_root, root);
}

#[test]
fn base58_matches_the_base58_crate() {
    let wallet = Wallet::new();
    let encoded = wallet.return_base58();
    assert_eq!(encoded, wallet.return_publickey().to_base58());
    assert!(!encoded.is_empty());
}

#[test]
fn signatures_verify_under_the_wallet_key() {
    let wallet = Wallet::new();
    let data = vec![1u8, 2, 3, 4, 5];
    let sig_bytes = wallet.create_signature(&data);
    assert_eq!(sig_bytes.len(), 64);

    let digest: [u8; 32] = Sha256::digest(&data).into();
    let msg = Message::from_digest(digest);
    let pk = PublicKey::from_slice(&wallet.return_publickey()).expect("a generated key parses");
    let sig = Signature::from_compact(&sig_bytes).expect("a compact signature parses");
    assert!(sig.verify(msg, &pk).is_ok());

    let other = vec![1u8, 2, 3, 4, 6];
    let other_digest: [u8; 32] = Sha256::digest(&other).into();
    assert!(sig.verify(Message::from_digest(other_digest), &pk).is_err());
}

#[test]
fn generated_keys_have_expected_shapes() {
    let (secret, public) = saito::helper::generate_keys();
    assert_eq!(secret.len(), 32);
    assert_eq!(public.len(), 33);
    assert!(PublicKey::from_slice(&public).is_ok());
    let (secret2, public2) = saito::helper::generate_keys();
    assert!(secret != secret2 || public != public2);
}

#[test]
fn time_since_unix_epoch_is_recent() {
    let t1 = saito::helper::time_since_unix_epoch();
    let t2 = saito::helper::time_since_unix_epoch();
    // after 2020 in milliseconds, and never decreasing across two reads
    assert!(t1 > 1_577_836_800_000);
    assert!(t2 >= t1);
}
