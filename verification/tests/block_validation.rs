use saito::block::Block;
use saito::slip::Slip;
use saito::transaction::{Transaction, TransactionType};

fn keyed_slip(address: Vec<u8>, amount: i64) -> Slip {
    let mut s = Slip::new(address);
    s.amount = amount;
    s
}

fn simple_base_tx(owner: Vec<u8>, amount: i64) -> Transaction {
    let mut tx = Transaction::new(TransactionType::Base);
    tx.add_from_slip(keyed_slip(owner.clone(), amount));
    tx.add_to_slip(keyed_slip(owner, amount));
    tx
}

fn block_pair() -> (Block, Block) {
    let prev = Block::new(Vec::new(), vec![3u8; 33]);
    let mut b = Block::new(prev.return_block_hash(), vec![3u8; 33]);
    b.id = 2;
    b.timestamp = prev.timestamp + 1000;
    (prev, b)
}

#[test]
fn validate_rejects_non_increasing_timestamp() {
    let (prev, mut b) = block_pair();
    b.set_merkle_root();
    b.timestamp = prev.timestamp;
    assert!(!b.validate(&prev));
    b.timestamp = prev.timestamp.wrapping_sub(5);
    assert!(!b.validate(&prev));
    b.timestamp = prev.timestamp + 1;
    b.set_merkle_root();
    assert!(b.validate(&prev));
}

#[test]
fn validate_rejects_double_spend_across_transactions() {
    let (prev, mut b) = block_pair();
    let owner = vec![5u8; 33];
    b.transactions.push(simple_base_tx(owner.clone(), 9));
    b.transactions.push(simple_base_tx(owner, 9));
    b.set_merkle_root();
    // both transactions reference a from slip with the same index
    assert_eq!(
        b.transactions[0].from[0].return_index(),
        b.transactions[1].from[0].return_index()
    );
    assert!(!b.validate(&prev));
}

#[test]
fn validate_rejects_double_spend_within_one_transaction() {
    let (prev, mut b) = block_pair();
    let owner = vec![5u8; 33];
    let mut tx = Transaction::new(TransactionType::Base);
    tx.add_from_slip(keyed_slip(owner.clone(), 4));
    tx.add_from_slip(keyed_slip(owner.clone(), 4));
    tx.add_to_slip(keyed_slip(owner, 8));
    b.transactions.push(tx);
    b.set_merkle_root();
    assert!(!b.validate(&prev));
}

#[test]
fn validate_rejects_invalid_base_transaction() {
    let (prev, mut b) = block_pair();
    let mut tx = Transaction::new(TransactionType::Base);
    tx.add_from_slip(keyed_slip(vec![5u8; 33], 4));
    tx.add_to_slip(keyed_slip(vec![6u8; 33], 5));
    b.transactions.push(tx);
    b.set_merkle_root();
    assert!(!b.validate(&prev));
}

#[test]
fn merkle_mismatch_detected_after_slip_mutation() {
    let (prev, mut b) = block_pair();
    b.transactions.push(simple_base_tx(vec![5u8; 33], 9));
    b.set_merkle_root();
    assert!(b.validate(&prev));
    // mutating a slip after the root was computed changes the leaves
    b.transactions[0].to[0].amount = 8;
    assert!(!b.validate(&prev));
}

#[test]
fn maturity_rejects_aged_positive_input() {
    let (prev, mut b) = block_pair();
    b.id = 30000;
    let owner = vec![5u8; 33];
    let mut tx = simple_base_tx(owner, 1);
    // confirmed more than a genesis period (21600 blocks) earlier
    tx.from[0].block_id = 1;
    b.transactions.clear();
    b.transactions.push(tx);
    b.set_merkle_root();
    assert!(!b.validate(&prev));
}

#[test]
fn maturity_accepts_aged_zero_amount_input() {
    let (prev, mut b) = block_pair();
    b.id = 30000;
    let owner = vec![5u8; 33];
    let mut tx = simple_base_tx(owner, 0);
    tx.from[0].block_id = 1;
    b.transactions.clear();
    b.transactions.push(tx);
    b.set_merkle_root();
    assert!(b.validate(&prev));
}

#[test]
fn maturity_accepts_recent_positive_input() {
    let (prev, mut b) = block_pair();
    b.id = 30000;
    let owner = vec![5u8; 33];
    let mut tx = simple_base_tx(owner, 7);
    tx.from[0].block_id = 30000 - 21600;
    b.transactions.clear();
    b.transactions.push(tx);
    b.set_merkle_root();
    assert!(b.validate(&prev));
}

#[test]
fn update_slips_stamps_outputs_with_block_identity() {
    let (_prev, mut b) = block_pair();
    b.transactions.push(simple_base_tx(vec![5u8; 33], 9));
    b.transactions[0].id = 77;
    let hash = b.return_block_hash();
    b.update_slips();
    assert_eq!(b.transactions[0].to[0].block_hash, hash);
    assert_eq!(b.transactions[0].to[0].block_id, b.id);
    assert_eq!(b.transactions[0].to[0].transaction_id, 77);
    // inputs are left as they were
    assert_eq!(b.transactions[0].from[0].block_hash, Vec::<u8>::new());
}

#[test]
fn bundle_assigns_running_ids() {
    let mut b = Block::new(Vec::new(), vec![3u8; 33]);
    let txs = vec![
        simple_base_tx(vec![5u8; 33], 1),
        simple_base_tx(vec![6u8; 33], 2),
    ];
    b.bundle(&Vec::new(), txs, 5, 7);
    assert_eq!(b.transactions.len(), 2);
    assert_eq!(b.transactions[0].id, 5);
    assert_eq!(b.transactions[1].id, 6);
    assert_eq!(b.transactions[0].from[0].id, 7);
    assert_eq!(b.transactions[0].to[0].id, 8);
    assert_eq!(b.transactions[1].from[0].id, 9);
    assert_eq!(b.transactions[1].to[0].id, 10);
    assert_eq!(b.transactions[0].from[0].block_id, b.id);
    assert_eq!(b.transactions[0].from[0].transaction_id, 5);
    assert_eq!(b.transactions[1].from[0].transaction_id, 6);
    assert_eq!(b.return_tx_len(), 2);
    assert_eq!(b.return_slip_len(), 4);
}

#[test]
fn bundle_with_previous_block_chains_and_emits() {
    let mut prev = Block::new(Vec::new(), vec![3u8; 33]);
    prev.id = 4;
    prev.treasury = 21600 * 10;
    prev.reclaimed = 21600 * 2;
    prev.difficulty = 321;
    prev.paysplit = 61;
    let blocks = vec![prev];
    let mut b = Block::new(Vec::new(), vec![3u8; 33]);
    b.bundle(&blocks, Vec::new(), 1, 1);
    assert_eq!(b.id, 5);
    // coinbase is one genesis-period share of treasury plus reclaimed
    assert_eq!(b.coinbase, 12);
    assert_eq!(b.treasury, 21600 * 12 - 12);
    assert_eq!(b.difficulty, 321);
    assert_eq!(b.paysplit, 61);
    assert_eq!(b.previous_hash, blocks[0].return_block_hash());
}
